use public_api::model::{
    AdtItem, AdtKind, AdtRef, AssocItem, AssocKind, Declaration, ImplDef, ModuleDef, ModulePath,
    NamedItem, SelfTy, TraitItem, TraitRef,
};
use public_api::render::{
    def_path, impl_is_public_api, module_path_text, render_adt, render_assoc_item,
    render_impl_header, render_module_def, rendered_impl_self_ty, AssocItemContainer,
    PublicApiPaths,
};

fn s(x: &str) -> String {
    x.to_string()
}

fn path(krate: Option<&str>, segments: &[&str]) -> ModulePath {
    ModulePath { krate: krate.map(s), segments: segments.iter().map(|x| s(x)).collect() }
}

fn adt_decl(id: u64, name: &str) -> Declaration {
    Declaration {
        name: s(name),
        def: ModuleDef::Adt(AdtItem {
            id,
            kind: AdtKind::Struct,
            name: s(name),
            display: format!("pub struct {};", name),
        }),
        nav: None,
    }
}

#[test]
fn module_paths() {
    assert_eq!(module_path_text(&path(Some("rocks"), &["arith", "int"])), "rocks::arith::int");
    assert_eq!(module_path_text(&path(None, &["a"])), "crate::a");
    assert_eq!(module_path_text(&path(Some("rocks"), &[])), "rocks");
    assert_eq!(def_path(&Some(path(Some("k"), &["m"])), &s("T")), Some(s("k::m::T")));
    assert_eq!(def_path(&None, &s("T")), None);
}

#[test]
fn first_declaration_gives_the_path() {
    let decls = vec![adt_decl(7, "Alias"), adt_decl(7, "Orig"), adt_decl(8, "Other")];
    let paths = PublicApiPaths::new(&s("k::m"), &decls, &vec![1, 0, 2]);
    assert_eq!(paths.adt_path(7), Some(&s("k::m::Orig")));
    assert_eq!(paths.adt_path(8), Some(&s("k::m::Other")));
    assert_eq!(paths.adt_path(9), None);
    assert_eq!(paths.trait_path(7), None);
}

#[test]
fn declarations_render_on_one_line() {
    let p = s("k::Config");
    let adt = AdtItem {
        id: 1,
        kind: AdtKind::Struct,
        name: s("Config"),
        display: s("pub struct Config {\n    pub limit: usize,\n}"),
    };
    assert_eq!(render_adt(&adt, &p), Some(s("pub struct k::Config {     pub limit: usize, }")));
    let ty = ModuleDef::TypeAlias(NamedItem { name: s("T"), display: s("pub type T = u8;") });
    assert_eq!(render_module_def(&ty, &s("k::T")), Some(s("pub type k::T = u8;")));
    let st = ModuleDef::Static(NamedItem { name: s("S"), display: s("pub static S: u8 = 0;") });
    assert_eq!(render_module_def(&st, &s("k::S")), Some(s("pub static k::S: u8 = 0;")));
    let m = ModuleDef::Module(path(Some("k"), &["sub"]));
    assert_eq!(render_module_def(&m, &s("ignored")), Some(s("pub mod k::sub")));
    assert_eq!(render_module_def(&ModuleDef::BuiltinType, &s("k::u8")), None);
}

fn int_impl(trait_: Option<TraitRef>, public_ty: bool) -> ImplDef {
    ImplDef {
        self_ty: SelfTy {
            adt: Some(AdtRef {
                id: 1,
                name: s("Int"),
                module: Some(path(Some("k"), &["int"])),
                is_public: public_ty,
            }),
            display: s("Int"),
        },
        trait_,
        items: vec![],
        nav: None,
    }
}

#[test]
fn impl_headers_and_self_types() {
    let no_paths = PublicApiPaths::new(&s("k"), &vec![], &vec![]);
    let imp = int_impl(None, true);
    assert_eq!(rendered_impl_self_ty(&imp, &no_paths), "k::int::Int");
    assert_eq!(render_impl_header(&imp, &no_paths), Some(s("impl k::int::Int")));
    let decls = vec![adt_decl(1, "Int")];
    let paths = PublicApiPaths::new(&s("k"), &decls, &vec![0]);
    assert_eq!(rendered_impl_self_ty(&imp, &paths), "k::Int");
    let tr = TraitRef {
        id: 3,
        name: s("Show"),
        display: s("trait Show"),
        module: None,
        is_public: true,
    };
    let imp2 = int_impl(Some(tr), true);
    assert_eq!(render_impl_header(&imp2, &paths), Some(s("impl Show for k::Int")));
    assert!(impl_is_public_api(&imp2));
    assert!(!impl_is_public_api(&int_impl(None, false)));
    let unnamed = ImplDef {
        self_ty: SelfTy { adt: None, display: s("&'a [u8]") },
        trait_: None,
        items: vec![],
        nav: None,
    };
    assert_eq!(rendered_impl_self_ty(&unnamed, &paths), "&'a [u8]");
}

#[test]
fn associated_items_render_under_their_owner() {
    let tr = TraitItem {
        id: 4,
        name: s("Solver"),
        display: s("pub trait Solver"),
        module: Some(path(Some("k"), &["m"])),
        items: vec![],
    };
    let item = AssocItem {
        kind: AssocKind::Const,
        name: Some(s("COMPLETE")),
        display: s("pub const COMPLETE: bool;"),
        is_public: true,
        nav: None,
    };
    let no_paths = PublicApiPaths::new(&s("k"), &vec![], &vec![]);
    assert_eq!(
        render_assoc_item(&item, AssocItemContainer::Trait(&tr), &no_paths),
        Some(s("pub const k::m::Solver::COMPLETE: bool;"))
    );
    let tr_no_module = TraitItem { module: None, ..tr };
    assert_eq!(render_assoc_item(&item, AssocItemContainer::Trait(&tr_no_module), &no_paths), None);
    let f = AssocItem {
        kind: AssocKind::Function,
        name: Some(s("to_text")),
        display: s("fn to_text(&self)"),
        is_public: false,
        nav: None,
    };
    let tref = TraitRef { id: 5, name: s("ToText"), display: s("trait ToText"), module: None, is_public: true };
    let imp = int_impl(Some(tref), true);
    assert_eq!(
        render_assoc_item(&f, AssocItemContainer::Impl(&imp), &no_paths),
        Some(s("pub fn k::int::Int::to_text(&self)"))
    );
    let inherent = int_impl(None, true);
    assert_eq!(
        render_assoc_item(&f, AssocItemContainer::Impl(&inherent), &no_paths),
        Some(s("fn k::int::Int::to_text(&self)"))
    );
    let unnamed = AssocItem { name: None, ..f };
    assert_eq!(render_assoc_item(&unnamed, AssocItemContainer::Impl(&inherent), &no_paths), None);
}
