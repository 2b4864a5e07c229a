//! Rendering of one item of the public interface as a single line.
use vstd::prelude::*;
use std::collections::HashMap;
use crate::model::{
    AdtItem, AdtKind, AssocItem, AssocKind, Declaration, ImplDef, ModuleDef, ModulePath,
    TraitItem, TraitRef,
};
use crate::text::{
    ensure_pub, join_parts, qualify_signature, seq_join, single_line, spec_ensure_pub,
    spec_qualify_signature, spec_single_line, spec_trim_trait_prefix, trim_trait_prefix, views,
};

verus! {

broadcast use vstd::std_specs::hash::group_hash_axioms;

/// The view of an optional string.
pub open spec fn opt_view(o: Option<String>) -> Option<Seq<char>> {
    match o {
        Some(s) => Some(s@),
        None => None,
    }
}

/// `a` when it is present, else `b`.
pub open spec fn or_else(a: Option<Seq<char>>, b: Option<Seq<char>>) -> Option<Seq<char>> {
    match a {
        Some(x) => Some(x),
        None => b,
    }
}

/// `items` in the order `order` gives, position by position.
pub open spec fn arranged<T>(items: Seq<T>, order: Seq<usize>) -> Seq<T> {
    Seq::new(order.len(), |i: int| items[order[i] as int])
}

/// The name a module path starts with: its crate's display name, or `crate`.
pub open spec fn spec_crate_name(p: ModulePath) -> Seq<char> {
    match p.krate {
        Some(k) => k@,
        None => "crate"@,
    }
}

/// The path of a module: its crate's name and its segments, joined by `::`.
pub open spec fn spec_module_path_text(p: ModulePath) -> Seq<char> {
    seq_join(seq![spec_crate_name(p)] + views(p.segments@), "::"@)
}

/// The path of an item of a module: the module's path, `::` and the item's name; none when
/// the item is in no module.
pub open spec fn spec_def_path(module: Option<ModulePath>, name: Seq<char>) -> Option<Seq<char>> {
    match module {
        Some(m) => Some(spec_module_path_text(m) + "::"@ + name),
        None => None,
    }
}

/// The path of a declaration of the module named `module_name`.
pub open spec fn decl_path(module_name: Seq<char>, d: Declaration) -> Seq<char> {
    module_name + "::"@ + d.name@
}

/// The path of the first declaration, in `decls`, that names the ADT `id`.
pub open spec fn first_adt_path(module_name: Seq<char>, decls: Seq<Declaration>, id: u64) -> Option<
    Seq<char>,
>
    decreases decls.len(),
{
    if decls.len() == 0 {
        None
    } else {
        match first_adt_path(module_name, decls.drop_last(), id) {
            Some(p) => Some(p),
            None => match decls.last().def {
                ModuleDef::Adt(a) => if a.id == id {
                    Some(decl_path(module_name, decls.last()))
                } else {
                    None
                },
                _ => None,
            },
        }
    }
}

/// The path of the first declaration, in `decls`, that names the trait `id`.
pub open spec fn first_trait_path(module_name: Seq<char>, decls: Seq<Declaration>, id: u64) -> Option<
    Seq<char>,
>
    decreases decls.len(),
{
    if decls.len() == 0 {
        None
    } else {
        match first_trait_path(module_name, decls.drop_last(), id) {
            Some(p) => Some(p),
            None => match decls.last().def {
                ModuleDef::Trait(t) => if t.id == id {
                    Some(decl_path(module_name, decls.last()))
                } else {
                    None
                },
                _ => None,
            },
        }
    }
}

/// Where the paths of ADTs and of traits are looked up, by identity.
pub type PathsView = (spec_fn(u64) -> Option<Seq<char>>, spec_fn(u64) -> Option<Seq<char>>);

/// The paths the declarations `decls` of the module named `module_name` give ADTs and traits.
pub open spec fn spec_paths(module_name: Seq<char>, decls: Seq<Declaration>) -> PathsView {
    (
        |id: u64| first_adt_path(module_name, decls, id),
        |id: u64| first_trait_path(module_name, decls, id),
    )
}

/// The paths under which the module's declarations show ADTs and traits.
pub struct PublicApiPaths {
    adts: HashMap<u64, String>,
    traits: HashMap<u64, String>,
}

impl View for PublicApiPaths {
    type V = PathsView;

    open spec fn view(&self) -> PathsView {
        (|id: u64| self.spec_adt_path(id), |id: u64| self.spec_trait_path(id))
    }
}

impl PublicApiPaths {
    /// The path shown for the ADT `id`, if any.
    pub closed spec fn spec_adt_path(&self, id: u64) -> Option<Seq<char>> {
        if self.adts@.contains_key(id) {
            Some(self.adts@[id]@)
        } else {
            None
        }
    }

    /// The path shown for the trait `id`, if any.
    pub closed spec fn spec_trait_path(&self, id: u64) -> Option<Seq<char>> {
        if self.traits@.contains_key(id) {
            Some(self.traits@[id]@)
        } else {
            None
        }
    }

    /// The paths of the declarations `decls`, taken in the order `order`: each ADT and each
    /// trait gets the path of the first declaration that names it.
    pub fn new(module_name: &String, decls: &Vec<Declaration>, order: &Vec<usize>) -> (r: Self)
        requires
            forall|i: int| 0 <= i < order@.len() ==> #[trigger] order@[i] < decls@.len(),
        ensures
            forall|id: u64|
                #[trigger] r.spec_adt_path(id) == first_adt_path(
                    module_name@,
                    arranged(decls@, order@),
                    id,
                ),
            forall|id: u64|
                #[trigger] r.spec_trait_path(id) == first_trait_path(
                    module_name@,
                    arranged(decls@, order@),
                    id,
                ),
            r@ == spec_paths(module_name@, arranged(decls@, order@)),
    {
        let ghost sorted = arranged(decls@, order@);
        let mut adts: HashMap<u64, String> = HashMap::new();
        let mut traits: HashMap<u64, String> = HashMap::new();
        let mut k: usize = 0;
        while k < order.len()
            invariant
                k <= order@.len(),
                sorted == arranged(decls@, order@),
                forall|i: int| 0 <= i < order@.len() ==> #[trigger] order@[i] < decls@.len(),
                forall|id: u64|
                    #[trigger] adts@.contains_key(id) <==> first_adt_path(
                        module_name@,
                        sorted.take(k as int),
                        id,
                    ) is Some,
                forall|id: u64|
                    #[trigger] adts@.contains_key(id) ==> first_adt_path(
                        module_name@,
                        sorted.take(k as int),
                        id,
                    ) == Some(adts@[id]@),
                forall|id: u64|
                    #[trigger] traits@.contains_key(id) <==> first_trait_path(
                        module_name@,
                        sorted.take(k as int),
                        id,
                    ) is Some,
                forall|id: u64|
                    #[trigger] traits@.contains_key(id) ==> first_trait_path(
                        module_name@,
                        sorted.take(k as int),
                        id,
                    ) == Some(traits@[id]@),
            decreases order@.len() - k,
        {
            let d = &decls[order[k]];
            proof {
                assert(sorted.take(k + 1).drop_last() =~= sorted.take(k as int));
                assert(sorted.take(k + 1).last() == *d);
            }
            match &d.def {
                ModuleDef::Adt(a) => {
                    if !adts.contains_key(&a.id) {
                        let path = join3(module_name.as_str(), "::", d.name.as_str());
                        adts.insert(a.id, path);
                    }
                },
                ModuleDef::Trait(t) => {
                    if !traits.contains_key(&t.id) {
                        let path = join3(module_name.as_str(), "::", d.name.as_str());
                        traits.insert(t.id, path);
                    }
                },
                _ => {},
            }
            k = k + 1;
        }
        proof {
            assert(sorted.take(order@.len() as int) =~= sorted);
        }
        let r = PublicApiPaths { adts, traits };
        assert(r@.0 =~= spec_paths(module_name@, sorted).0);
        assert(r@.1 =~= spec_paths(module_name@, sorted).1);
        r
    }

    /// The path shown for the ADT `id`, if any.
    pub fn adt_path(&self, id: u64) -> (r: Option<&String>)
        ensures
            match r {
                Some(s) => self.spec_adt_path(id) == Some(s@),
                None => self.spec_adt_path(id) is None,
            },
    {
        self.adts.get(&id)
    }

    /// The path shown for the trait `id`, if any.
    pub fn trait_path(&self, id: u64) -> (r: Option<&String>)
        ensures
            match r {
                Some(s) => self.spec_trait_path(id) == Some(s@),
                None => self.spec_trait_path(id) is None,
            },
    {
        self.traits.get(&id)
    }
}

/// `a`, `sep` and `b`, one after the other.
pub fn join3(a: &str, sep: &str, b: &str) -> (r: String)
    ensures
        r@ == a@ + sep@ + b@,
{
    let mut r = String::from_str(a);
    r.append(sep);
    r.append(b);
    r
}

/// The path of a module: its crate's name and its segments, joined by `::`.
pub fn module_path_text(p: &ModulePath) -> (r: String)
    ensures
        r@ == spec_module_path_text(*p),
{
    let mut parts: Vec<String> = Vec::new();
    match &p.krate {
        Some(k) => parts.push(k.clone()),
        None => parts.push(String::from_str("crate")),
    }
    let mut i: usize = 0;
    while i < p.segments.len()
        invariant
            i <= p.segments@.len(),
            views(parts@) == seq![spec_crate_name(*p)] + views(p.segments@).take(i as int),
        decreases p.segments@.len() - i,
    {
        let s = p.segments[i].clone();
        proof {
            assert(views(parts@.push(s)) =~= views(parts@).push(s@));
            assert(views(p.segments@).take(i + 1) =~= views(p.segments@).take(i as int).push(s@));
        }
        parts.push(s);
        i = i + 1;
    }
    proof {
        assert(views(p.segments@).take(i as int) =~= views(p.segments@));
    }
    join_parts(&parts, "::")
}

/// The path of an item of `module` named `name`; none when it is in no module.
pub fn def_path(module: &Option<ModulePath>, name: &String) -> (r: Option<String>)
    ensures
        opt_view(r) == spec_def_path(*module, name@),
{
    match module {
        Some(m) => {
            let mp = module_path_text(m);
            Some(join3(mp.as_str(), "::", name.as_str()))
        },
        None => None,
    }
}

/// The keyword of an ADT kind.
pub open spec fn adt_keyword(kind: AdtKind) -> Seq<char> {
    match kind {
        AdtKind::Struct => "struct"@,
        AdtKind::Enum => "enum"@,
        AdtKind::Union => "union"@,
    }
}

/// The line of an ADT: its signature with its name replaced by `path`, on one line.
pub open spec fn spec_render_adt(a: AdtItem, path: Seq<char>) -> Seq<char> {
    spec_single_line(spec_qualify_signature(a.display@, adt_keyword(a.kind), a.name@, path))
}

/// The line of a declaration shown under `path`; none for an unnamed constant, an enum
/// variant or a builtin type.
pub open spec fn spec_render_module_def(def: ModuleDef, path: Seq<char>) -> Option<Seq<char>> {
    let line: Option<Seq<char>> = match def {
        ModuleDef::Module(m) => Some("pub mod "@ + spec_module_path_text(m)),
        ModuleDef::Function(f) => Some(spec_qualify_signature(f.display@, "fn"@, f.name@, path)),
        ModuleDef::Adt(a) => Some(spec_render_adt(a, path)),
        ModuleDef::Const(c) => match c.name {
            Some(n) => Some(spec_qualify_signature(c.display@, "const"@, n@, path)),
            None => None,
        },
        ModuleDef::Static(s) => Some(spec_qualify_signature(s.display@, "static"@, s.name@, path)),
        ModuleDef::Trait(t) => Some(spec_qualify_signature(t.display@, "trait"@, t.name@, path)),
        ModuleDef::TypeAlias(t) => Some(spec_qualify_signature(t.display@, "type"@, t.name@, path)),
        ModuleDef::Macro(m) => Some(
            spec_qualify_signature(m.display@, "macro_rules!"@, m.name@, path),
        ),
        ModuleDef::EnumVariant => None,
        ModuleDef::BuiltinType => None,
    };
    match line {
        Some(l) => Some(spec_single_line(l)),
        None => None,
    }
}

/// The line of an ADT: its signature with its name replaced by `path`, on one line.
pub fn render_adt(a: &AdtItem, path: &String) -> (r: Option<String>)
    ensures
        opt_view(r) == Some(spec_render_adt(*a, path@)),
{
    let keyword = match a.kind {
        AdtKind::Struct => "struct",
        AdtKind::Enum => "enum",
        AdtKind::Union => "union",
    };
    let q = qualify_signature(a.display.clone(), keyword, a.name.as_str(), path.as_str());
    Some(single_line(q))
}

/// The line of a declaration shown under `path`; none for an unnamed constant, an enum
/// variant or a builtin type.
pub fn render_module_def(def: &ModuleDef, path: &String) -> (r: Option<String>)
    ensures
        opt_view(r) == spec_render_module_def(*def, path@),
{
    let line = match def {
        ModuleDef::Module(m) => {
            let mp = module_path_text(m);
            let mut l = String::from_str("pub mod ");
            l.append(mp.as_str());
            l
        },
        ModuleDef::Function(f) => qualify_signature(
            f.display.clone(),
            "fn",
            f.name.as_str(),
            path.as_str(),
        ),
        ModuleDef::Adt(a) => {
            let r = render_adt(a, path);
            match r {
                Some(l) => l,
                None => {
                    return None;
                },
            }
        },
        ModuleDef::Const(c) => match &c.name {
            Some(n) => qualify_signature(c.display.clone(), "const", n.as_str(), path.as_str()),
            None => {
                return None;
            },
        },
        ModuleDef::Static(s) => qualify_signature(
            s.display.clone(),
            "static",
            s.name.as_str(),
            path.as_str(),
        ),
        ModuleDef::Trait(t) => qualify_signature(
            t.display.clone(),
            "trait",
            t.name.as_str(),
            path.as_str(),
        ),
        ModuleDef::TypeAlias(t) => qualify_signature(
            t.display.clone(),
            "type",
            t.name.as_str(),
            path.as_str(),
        ),
        ModuleDef::Macro(m) => qualify_signature(
            m.display.clone(),
            "macro_rules!",
            m.name.as_str(),
            path.as_str(),
        ),
        ModuleDef::EnumVariant => {
            return None;
        },
        ModuleDef::BuiltinType => {
            return None;
        },
    };
    Some(single_line(line))
}

/// The rendering of an impl's self type: the path of its ADT when it has one, else its
/// own rendering.
pub open spec fn spec_rendered_impl_self_ty(imp: ImplDef, paths: PathsView) -> Seq<char> {
    let adt_path: Option<Seq<char>> = match imp.self_ty.adt {
        Some(adt) => or_else((paths.0)(adt.id), spec_def_path(adt.module, adt.name@)),
        None => None,
    };
    match adt_path {
        Some(p) => p,
        None => imp.self_ty.display@,
    }
}

/// The path of an impl's trait: where the module shows it, else its own path, else its
/// rendering without the leading `trait `.
pub open spec fn spec_impl_trait_path(t: TraitRef, paths: PathsView) -> Seq<char> {
    match or_else((paths.1)(t.id), spec_def_path(t.module, t.name@)) {
        Some(p) => p,
        None => spec_trim_trait_prefix(t.display@),
    }
}

/// The header line of an impl: `impl Trait for Type` or `impl Type`.
pub open spec fn spec_render_impl_header(imp: ImplDef, paths: PathsView) -> Option<Seq<char>> {
    let self_ty = spec_rendered_impl_self_ty(imp, paths);
    let line = match imp.trait_ {
        Some(t) => "impl "@ + spec_impl_trait_path(t, paths) + " for "@ + self_ty,
        None => "impl "@ + self_ty,
    };
    Some(spec_single_line(line))
}

/// An impl is part of the public interface when the ADT it is for and its trait are public.
pub open spec fn spec_impl_is_public_api(imp: ImplDef) -> bool {
    &&& match imp.self_ty.adt {
        Some(adt) => adt.is_public,
        None => true,
    }
    &&& match imp.trait_ {
        Some(t) => t.is_public,
        None => true,
    }
}

/// The rendering of an impl's self type: the path of its ADT when it has one, else its
/// own rendering.
pub fn rendered_impl_self_ty(imp: &ImplDef, paths: &PublicApiPaths) -> (r: String)
    ensures
        r@ == spec_rendered_impl_self_ty(*imp, paths@),
{
    match &imp.self_ty.adt {
        Some(adt) => match paths.adt_path(adt.id) {
            Some(p) => p.clone(),
            None => match def_path(&adt.module, &adt.name) {
                Some(p) => p,
                None => imp.self_ty.display.clone(),
            },
        },
        None => imp.self_ty.display.clone(),
    }
}

/// The header line of an impl: `impl Trait for Type` or `impl Type`.
pub fn render_impl_header(imp: &ImplDef, paths: &PublicApiPaths) -> (r: Option<String>)
    ensures
        opt_view(r) == spec_render_impl_header(*imp, paths@),
{
    let self_ty = rendered_impl_self_ty(imp, paths);
    let line = match &imp.trait_ {
        Some(t) => {
            let trait_path = match paths.trait_path(t.id) {
                Some(p) => p.clone(),
                None => match def_path(&t.module, &t.name) {
                    Some(p) => p,
                    None => trim_trait_prefix(t.display.as_str()),
                },
            };
            let mut l = String::from_str("impl ");
            l.append(trait_path.as_str());
            l.append(" for ");
            l.append(self_ty.as_str());
            l
        },
        None => {
            let mut l = String::from_str("impl ");
            l.append(self_ty.as_str());
            l
        },
    };
    Some(single_line(line))
}

/// An impl is part of the public interface when the ADT it is for and its trait are public.
pub fn impl_is_public_api(imp: &ImplDef) -> (r: bool)
    ensures
        r == spec_impl_is_public_api(*imp),
{
    let self_ty_is_public = match &imp.self_ty.adt {
        Some(adt) => adt.is_public,
        None => true,
    };
    let trait_is_public = match &imp.trait_ {
        Some(t) => t.is_public,
        None => true,
    };
    self_ty_is_public && trait_is_public
}

/// What holds an associated item: a trait of the module or one of its impls.
pub enum AssocItemContainer<'a> {
    Trait(&'a TraitItem),
    Impl(&'a ImplDef),
}

/// The keyword of an associated item's kind.
pub open spec fn assoc_keyword(kind: AssocKind) -> Seq<char> {
    match kind {
        AssocKind::Function => "fn"@,
        AssocKind::Const => "const"@,
        AssocKind::TypeAlias => "type"@,
    }
}

/// The line of an associated item: its signature with its name replaced by the path of
/// its owner and its name, `pub ` in front for an item of a trait impl, on one line; none
/// for an unnamed item or a trait whose path is unknown.
pub open spec fn spec_render_assoc_item(
    item: AssocItem,
    container: AssocItemContainer,
    paths: PathsView,
) -> Option<Seq<char>> {
    match item.name {
        None => None,
        Some(name) => {
            let is_trait_impl = match container {
                AssocItemContainer::Impl(imp) => imp.trait_ is Some,
                AssocItemContainer::Trait(_) => false,
            };
            let owner: Option<Seq<char>> = match container {
                AssocItemContainer::Trait(t) => or_else(
                    (paths.1)(t.id),
                    spec_def_path(t.module, t.name@),
                ),
                AssocItemContainer::Impl(imp) => Some(spec_rendered_impl_self_ty(*imp, paths)),
            };
            match owner {
                None => None,
                Some(owner) => {
                    let path = owner + "::"@ + name@;
                    let line = spec_qualify_signature(
                        item.display@,
                        assoc_keyword(item.kind),
                        name@,
                        path,
                    );
                    let line = if is_trait_impl {
                        spec_ensure_pub(line)
                    } else {
                        line
                    };
                    Some(spec_single_line(line))
                },
            }
        },
    }
}

/// The line of an associated item: its signature with its name replaced by the path of
/// its owner and its name, `pub ` in front for an item of a trait impl, on one line; none
/// for an unnamed item or a trait whose path is unknown.
pub fn render_assoc_item(item: &AssocItem, container: AssocItemContainer, paths: &PublicApiPaths) -> (r:
    Option<String>)
    ensures
        opt_view(r) == spec_render_assoc_item(*item, container, paths@),
{
    let name = match &item.name {
        Some(n) => n,
        None => {
            return None;
        },
    };
    let is_trait_impl = match container {
        AssocItemContainer::Impl(imp) => imp.trait_.is_some(),
        AssocItemContainer::Trait(_) => false,
    };
    let owner = match container {
        AssocItemContainer::Trait(t) => match paths.trait_path(t.id) {
            Some(p) => p.clone(),
            None => match def_path(&t.module, &t.name) {
                Some(p) => p,
                None => {
                    return None;
                },
            },
        },
        AssocItemContainer::Impl(imp) => rendered_impl_self_ty(imp, paths),
    };
    let path = join3(owner.as_str(), "::", name.as_str());
    let keyword = match item.kind {
        AssocKind::Function => "fn",
        AssocKind::Const => "const",
        AssocKind::TypeAlias => "type",
    };
    let line = qualify_signature(item.display.clone(), keyword, name.as_str(), path.as_str());
    let line = if is_trait_impl {
        ensure_pub(line)
    } else {
        line
    };
    Some(single_line(line))
}

} // verus!
